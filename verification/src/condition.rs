//! Boundary and load conditions on mesh regions, and their validation:
//! each condition must target a region of a fitting dimension, and no region
//! may carry two conditions of the same signature.
use std::collections::BTreeMap;
use vstd::prelude::*;

use crate::annotation::{
    copy_decimals, copy_units, decimal_views, resolve, units_view, AnnotationError, EntitySelector,
    ParameterValue, ValueView,
};
use crate::mesh::{EntityDimension, MeshTopology, Region, RegionId};
use crate::numbers::Decimal;

verus! {

broadcast use {vstd::std_specs::btree::group_btree_axioms, vstd::laws_cmp::group_laws_cmp};

pub type ConditionId = usize;

/// What a condition prescribes.
#[derive(Debug, PartialEq)]
pub enum ConditionKind {
    Dirichlet { field: String, value: ParameterValue },
    Neumann { field: String, flux: ParameterValue },
    Robin { field: String, coefficient: ParameterValue, reference: ParameterValue },
    PointLoad { components: Vec<Decimal>, units: Option<String> },
    BodyLoad { components: Vec<Decimal>, units: Option<String> },
    Traction { components: Vec<Decimal>, units: Option<String> },
    Pressure { value: Decimal, units: Option<String> },
    HeatFlux { value: Decimal, units: Option<String> },
}

/// A condition kind with its texts and numbers by their characters.
pub enum KindView {
    Dirichlet { field: Seq<char>, value: ValueView },
    Neumann { field: Seq<char>, flux: ValueView },
    Robin { field: Seq<char>, coefficient: ValueView, reference: ValueView },
    PointLoad { components: Seq<Seq<char>>, units: Option<Seq<char>> },
    BodyLoad { components: Seq<Seq<char>>, units: Option<Seq<char>> },
    Traction { components: Seq<Seq<char>>, units: Option<Seq<char>> },
    Pressure { value: Seq<char>, units: Option<Seq<char>> },
    HeatFlux { value: Seq<char>, units: Option<Seq<char>> },
}

impl View for ConditionKind {
    type V = KindView;

    open spec fn view(&self) -> KindView {
        match self {
            ConditionKind::Dirichlet { field, value } => KindView::Dirichlet {
                field: field@,
                value: value@,
            },
            ConditionKind::Neumann { field, flux } => KindView::Neumann { field: field@, flux: flux@ },
            ConditionKind::Robin { field, coefficient, reference } => KindView::Robin {
                field: field@,
                coefficient: coefficient@,
                reference: reference@,
            },
            ConditionKind::PointLoad { components, units } => KindView::PointLoad {
                components: decimal_views(components@),
                units: units_view(*units),
            },
            ConditionKind::BodyLoad { components, units } => KindView::BodyLoad {
                components: decimal_views(components@),
                units: units_view(*units),
            },
            ConditionKind::Traction { components, units } => KindView::Traction {
                components: decimal_views(components@),
                units: units_view(*units),
            },
            ConditionKind::Pressure { value, units } => KindView::Pressure {
                value: value@,
                units: units_view(*units),
            },
            ConditionKind::HeatFlux { value, units } => KindView::HeatFlux {
                value: value@,
                units: units_view(*units),
            },
        }
    }
}

/// The kinds of entity a condition may target.
#[derive(Clone, Copy, Debug, PartialEq, Eq, Structural)]
pub enum TargetClass {
    AnyEntity,
    Point,
    Boundary,
    Domain,
}

/// The natural conditions on a field.
#[derive(Clone, Copy, Debug, PartialEq, Eq, Structural)]
pub enum NaturalKind {
    Neumann,
    Robin,
}

/// The mechanical loads.
#[derive(Clone, Copy, Debug, PartialEq, Eq, Structural)]
pub enum MechanicalLoad {
    PointLoad,
    BodyLoad,
    Traction,
    Pressure,
}

/// The thermal loads.
#[derive(Clone, Copy, Debug, PartialEq, Eq, Structural)]
pub enum ThermalLoad {
    HeatFlux,
}

/// The name of a natural condition kind.
pub open spec fn natural_name(k: NaturalKind) -> Seq<char> {
    match k {
        NaturalKind::Neumann => "neumann"@,
        NaturalKind::Robin => "robin"@,
    }
}

/// The name of a mechanical load.
pub open spec fn mechanical_name(l: MechanicalLoad) -> Seq<char> {
    match l {
        MechanicalLoad::PointLoad => "point_load"@,
        MechanicalLoad::BodyLoad => "body_load"@,
        MechanicalLoad::Traction => "traction"@,
        MechanicalLoad::Pressure => "pressure"@,
    }
}

/// The name of a thermal load.
pub open spec fn thermal_name(l: ThermalLoad) -> Seq<char> {
    match l {
        ThermalLoad::HeatFlux => "heat_flux"@,
    }
}

impl NaturalKind {
    /// The name of the condition.
    pub fn as_str(self) -> (s: &'static str)
        ensures
            s@ == natural_name(self),
    {
        match self {
            NaturalKind::Neumann => "neumann",
            NaturalKind::Robin => "robin",
        }
    }
}

impl MechanicalLoad {
    /// The name of the load.
    pub fn as_str(self) -> (s: &'static str)
        ensures
            s@ == mechanical_name(self),
    {
        match self {
            MechanicalLoad::PointLoad => "point_load",
            MechanicalLoad::BodyLoad => "body_load",
            MechanicalLoad::Traction => "traction",
            MechanicalLoad::Pressure => "pressure",
        }
    }
}

impl ThermalLoad {
    /// The name of the load.
    pub fn as_str(self) -> (s: &'static str)
        ensures
            s@ == thermal_name(self),
    {
        match self {
            ThermalLoad::HeatFlux => "heat_flux",
        }
    }
}

/// What a region may carry at most once: an essential condition per field,
/// a natural condition per kind and field, each mechanical and thermal load.
#[derive(Debug, PartialEq)]
pub enum ConditionSignature {
    EssentialField(String),
    NaturalField { kind: NaturalKind, field: String },
    Mechanical(MechanicalLoad),
    Thermal(ThermalLoad),
}

/// Two signatures name the same thing.
pub open spec fn same_signature(a: ConditionSignature, b: ConditionSignature) -> bool {
    match (a, b) {
        (ConditionSignature::EssentialField(x), ConditionSignature::EssentialField(y)) => x@ == y@,
        (
            ConditionSignature::NaturalField { kind: k1, field: f1 },
            ConditionSignature::NaturalField { kind: k2, field: f2 },
        ) => k1 == k2 && f1@ == f2@,
        (ConditionSignature::Mechanical(x), ConditionSignature::Mechanical(y)) => x == y,
        (ConditionSignature::Thermal(x), ConditionSignature::Thermal(y)) => x == y,
        _ => false,
    }
}

fn same_signature_exec(a: &ConditionSignature, b: &ConditionSignature) -> (r: bool)
    ensures
        r == same_signature(*a, *b),
{
    match (a, b) {
        (ConditionSignature::EssentialField(x), ConditionSignature::EssentialField(y)) => *x == *y,
        (
            ConditionSignature::NaturalField { kind: k1, field: f1 },
            ConditionSignature::NaturalField { kind: k2, field: f2 },
        ) => *k1 == *k2 && *f1 == *f2,
        (ConditionSignature::Mechanical(x), ConditionSignature::Mechanical(y)) => *x == *y,
        (ConditionSignature::Thermal(x), ConditionSignature::Thermal(y)) => *x == *y,
        _ => false,
    }
}

/// The kinds of entity a condition kind may target.
pub open spec fn target_class_of(k: ConditionKind) -> TargetClass {
    match k {
        ConditionKind::Dirichlet { .. } => TargetClass::AnyEntity,
        ConditionKind::Neumann { .. } | ConditionKind::Robin { .. } | ConditionKind::Traction {
            ..
        } => TargetClass::Boundary,
        ConditionKind::PointLoad { .. } => TargetClass::Point,
        ConditionKind::BodyLoad { .. } => TargetClass::Domain,
        ConditionKind::Pressure { .. } | ConditionKind::HeatFlux { .. } => TargetClass::Boundary,
    }
}

/// The signature of a condition kind.
pub open spec fn signature_of(k: ConditionKind) -> ConditionSignature {
    match k {
        ConditionKind::Dirichlet { field, .. } => ConditionSignature::EssentialField(field),
        ConditionKind::Neumann { field, .. } => ConditionSignature::NaturalField {
            kind: NaturalKind::Neumann,
            field,
        },
        ConditionKind::Robin { field, .. } => ConditionSignature::NaturalField {
            kind: NaturalKind::Robin,
            field,
        },
        ConditionKind::PointLoad { .. } => ConditionSignature::Mechanical(MechanicalLoad::PointLoad),
        ConditionKind::BodyLoad { .. } => ConditionSignature::Mechanical(MechanicalLoad::BodyLoad),
        ConditionKind::Traction { .. } => ConditionSignature::Mechanical(MechanicalLoad::Traction),
        ConditionKind::Pressure { .. } => ConditionSignature::Mechanical(MechanicalLoad::Pressure),
        ConditionKind::HeatFlux { .. } => ConditionSignature::Thermal(ThermalLoad::HeatFlux),
    }
}

impl ConditionKind {
    /// The kinds of entity this condition may target.
    pub fn target_class(&self) -> (c: TargetClass)
        ensures
            c == target_class_of(*self),
    {
        match self {
            ConditionKind::Dirichlet { .. } => TargetClass::AnyEntity,
            ConditionKind::Neumann { .. } | ConditionKind::Robin { .. } | ConditionKind::Traction {
                ..
            } => TargetClass::Boundary,
            ConditionKind::PointLoad { .. } => TargetClass::Point,
            ConditionKind::BodyLoad { .. } => TargetClass::Domain,
            ConditionKind::Pressure { .. } | ConditionKind::HeatFlux { .. } => TargetClass::Boundary,
        }
    }

    /// The signature of this condition.
    pub fn signature(&self) -> (s: ConditionSignature)
        ensures
            s == signature_of(*self),
    {
        match self {
            ConditionKind::Dirichlet { field, .. } => ConditionSignature::EssentialField(field.clone()),
            ConditionKind::Neumann { field, .. } => ConditionSignature::NaturalField {
                kind: NaturalKind::Neumann,
                field: field.clone(),
            },
            ConditionKind::Robin { field, .. } => ConditionSignature::NaturalField {
                kind: NaturalKind::Robin,
                field: field.clone(),
            },
            ConditionKind::PointLoad { .. } => ConditionSignature::Mechanical(MechanicalLoad::PointLoad),
            ConditionKind::BodyLoad { .. } => ConditionSignature::Mechanical(MechanicalLoad::BodyLoad),
            ConditionKind::Traction { .. } => ConditionSignature::Mechanical(MechanicalLoad::Traction),
            ConditionKind::Pressure { .. } => ConditionSignature::Mechanical(MechanicalLoad::Pressure),
            ConditionKind::HeatFlux { .. } => ConditionSignature::Thermal(ThermalLoad::HeatFlux),
        }
    }

    /// A copy of this condition kind.
    pub fn copy(&self) -> (k: ConditionKind)
        ensures
            k@ == self@,
    {
        match self {
            ConditionKind::Dirichlet { field, value } => ConditionKind::Dirichlet {
                field: field.clone(),
                value: value.copy(),
            },
            ConditionKind::Neumann { field, flux } => ConditionKind::Neumann {
                field: field.clone(),
                flux: flux.copy(),
            },
            ConditionKind::Robin { field, coefficient, reference } => ConditionKind::Robin {
                field: field.clone(),
                coefficient: coefficient.copy(),
                reference: reference.copy(),
            },
            ConditionKind::PointLoad { components, units } => ConditionKind::PointLoad {
                components: copy_decimals(components),
                units: copy_units(units),
            },
            ConditionKind::BodyLoad { components, units } => ConditionKind::BodyLoad {
                components: copy_decimals(components),
                units: copy_units(units),
            },
            ConditionKind::Traction { components, units } => ConditionKind::Traction {
                components: copy_decimals(components),
                units: copy_units(units),
            },
            ConditionKind::Pressure { value, units } => ConditionKind::Pressure {
                value: value.copy(),
                units: copy_units(units),
            },
            ConditionKind::HeatFlux { value, units } => ConditionKind::HeatFlux {
                value: value.copy(),
                units: copy_units(units),
            },
        }
    }
}

/// A condition on a region.
#[derive(Debug, PartialEq)]
pub struct Condition {
    pub id: ConditionId,
    pub name: String,
    pub target: EntitySelector,
    pub kind: ConditionKind,
}

impl Condition {
    pub fn new(id: ConditionId, name: &str, target: EntitySelector, kind: ConditionKind) -> (c:
        Condition)
        ensures
            c.id == id,
            c.name@ == name@,
            c.target == target,
            c.kind == kind,
    {
        Condition { id, name: name.to_owned(), target, kind }
    }
}

/// A condition whose target has been resolved to a region id.
#[derive(Debug, PartialEq)]
pub struct ResolvedCondition {
    pub id: ConditionId,
    pub name: String,
    pub region_id: RegionId,
    pub kind: ConditionKind,
}

/// Conditions whose targets have all been resolved.
#[derive(Debug, PartialEq)]
pub struct ResolvedConditionSet {
    pub conditions: Vec<ResolvedCondition>,
}

/// Why conditions do not fit a topology.
#[derive(Debug, PartialEq)]
pub enum ConditionError {
    Selector(AnnotationError),
    DuplicateConditionId { id: ConditionId },
    InvalidTargetDimension {
        condition_id: ConditionId,
        kind: ConditionKind,
        expected: &'static str,
        actual: EntityDimension,
    },
    DuplicateConditionForTarget { region_id: RegionId, signature: ConditionSignature },
}

/// What a condition kind requires of its target's dimension, in words.
pub fn expected_description(target_class: TargetClass) -> (s: &'static str)
    ensures
        s@ == description_of(target_class)@,
{
    match target_class {
        TargetClass::AnyEntity => "any entity within the mesh dimension",
        TargetClass::Point => "a point region",
        TargetClass::Boundary => "a boundary region with dimension mesh_dimension - 1",
        TargetClass::Domain => "a domain region with the same dimension as the mesh",
    }
}

/// What a condition kind requires of its target's dimension, in words.
pub open spec fn description_of(target_class: TargetClass) -> &'static str {
    match target_class {
        TargetClass::AnyEntity => "any entity within the mesh dimension",
        TargetClass::Point => "a point region",
        TargetClass::Boundary => "a boundary region with dimension mesh_dimension - 1",
        TargetClass::Domain => "a domain region with the same dimension as the mesh",
    }
}

/// Whether a region of dimension `region` fits a target class in a mesh of
/// dimension `mesh`: any entity of at most the mesh dimension, a point, a
/// boundary one dimension down, or a domain of the mesh dimension.
pub open spec fn dimension_fits(class: TargetClass, mesh: nat, region: EntityDimension) -> bool {
    match class {
        TargetClass::AnyEntity => region.dim() <= mesh,
        TargetClass::Point => region == EntityDimension::Point,
        TargetClass::Boundary => mesh > 0 && region.dim() + 1 == mesh,
        TargetClass::Domain => region.dim() == mesh,
    }
}

fn dimension_fits_exec(class: TargetClass, mesh: usize, region: EntityDimension) -> (r: bool)
    ensures
        r == dimension_fits(class, mesh as nat, region),
{
    let d = region.spatial_dimension();
    match class {
        TargetClass::AnyEntity => d <= mesh,
        TargetClass::Point => region == EntityDimension::Point,
        TargetClass::Boundary => mesh > 0 && d + 1 == mesh,
        TargetClass::Domain => d == mesh,
    }
}

/// The first region with the given id.
pub open spec fn region_dimension(regions: Seq<Region>, id: RegionId) -> EntityDimension {
    regions[choose|i: int|
        0 <= i < regions.len() && regions[i].id == id && forall|j: int|
            0 <= j < i ==> regions[j].id != id].dimension
}

/// What is wrong with a condition, given the conditions before it (whose
/// targets all resolve), in a mesh of dimension `mesh` with `regions`.
#[verifier::opaque]
pub open spec fn condition_error(
    earlier: Seq<Condition>,
    c: Condition,
    mesh: nat,
    regions: Seq<Region>,
) -> Option<ConditionError> {
    if exists|i: int| 0 <= i < earlier.len() && #[trigger] earlier[i].id == c.id {
        Some(ConditionError::DuplicateConditionId { id: c.id })
    } else {
        match resolve(c.target, regions) {
            Err(e) => Some(ConditionError::Selector(e)),
            Ok(r) => if !dimension_fits(
                target_class_of(c.kind),
                mesh,
                region_dimension(regions, r),
            ) {
                Some(
                    ConditionError::InvalidTargetDimension {
                        condition_id: c.id,
                        kind: c.kind,
                        expected: description_of(target_class_of(c.kind)),
                        actual: region_dimension(regions, r),
                    },
                )
            } else if exists|i: int|
                0 <= i < earlier.len() && resolve(#[trigger] earlier[i].target, regions) == Ok::<
                    RegionId,
                    AnnotationError,
                >(r) && same_signature(signature_of(earlier[i].kind), signature_of(c.kind)) {
                Some(
                    ConditionError::DuplicateConditionForTarget {
                        region_id: r,
                        signature: signature_of(c.kind),
                    },
                )
            } else {
                None
            },
        }
    }
}

/// The first problem among the conditions, in order.
pub open spec fn conditions_error(cs: Seq<Condition>, mesh: nat, regions: Seq<Region>) -> Option<
    ConditionError,
>
    decreases cs.len(),
{
    if cs.len() == 0 {
        None
    } else {
        match conditions_error(cs.drop_last(), mesh, regions) {
            Some(e) => Some(e),
            None => condition_error(cs.drop_last(), cs.last(), mesh, regions),
        }
    }
}

/// The same error, with condition kinds compared by their views.
pub open spec fn same_error(a: ConditionError, b: ConditionError) -> bool {
    match (a, b) {
        (
            ConditionError::InvalidTargetDimension {
                condition_id: c1,
                kind: k1,
                expected: e1,
                actual: a1,
            },
            ConditionError::InvalidTargetDimension {
                condition_id: c2,
                kind: k2,
                expected: e2,
                actual: a2,
            },
        ) => c1 == c2 && k1@ == k2@ && e1@ == e2@ && a1 == a2,
        _ => a == b,
    }
}

/// The resolved form of a condition.
#[verifier::opaque]
pub open spec fn resolves_condition(r: ResolvedCondition, c: Condition, regions: Seq<Region>) -> bool {
    &&& r.id == c.id
    &&& r.name@ == c.name@
    &&& Ok::<RegionId, AnnotationError>(r.region_id) == resolve(c.target, regions)
    &&& r.kind@ == c.kind@
}

proof fn lemma_conditions_error_stays(all: Seq<Condition>, mesh: nat, regions: Seq<Region>, k: int)
    requires
        0 <= k <= all.len(),
        conditions_error(all.take(k), mesh, regions) is Some,
    ensures
        conditions_error(all, mesh, regions) == conditions_error(all.take(k), mesh, regions),
    decreases all.len() - k,
{
    if k < all.len() {
        assert(all.take(k + 1).drop_last() =~= all.take(k));
        lemma_conditions_error_stays(all, mesh, regions, k + 1);
    } else {
        assert(all.take(k) =~= all);
    }
}

fn find_region_dimension(regions: &Vec<Region>, id: RegionId) -> (d: EntityDimension)
    requires
        exists|i: int| 0 <= i < regions@.len() && #[trigger] regions@[i].id == id,
    ensures
        d == region_dimension(regions@, id),
{
    let mut i: usize = 0;
    while i < regions.len()
        invariant
            i <= regions@.len(),
            exists|k: int| 0 <= k < regions@.len() && #[trigger] regions@[k].id == id,
            forall|j: int| 0 <= j < i ==> regions@[j].id != id,
        decreases regions@.len() - i,
    {
        if regions[i].id == id {
            let ghost c = choose|k: int|
                0 <= k < regions@.len() && regions@[k].id == id && forall|j: int|
                    0 <= j < k ==> regions@[j].id != id;
            assert(regions@[i as int].id == id && forall|j: int| 0 <= j < i ==> regions@[j].id != id);
            assert(c == i) by {
                if c < i {
                    assert(regions@[c].id != id);
                } else if c > i {
                    assert(regions@[i as int].id != id);
                }
            }
            return regions[i].dimension;
        }
        i += 1;
    }
    assert(false);
    EntityDimension::Point
}

/// A set of conditions.
#[derive(Debug, PartialEq)]
pub struct ConditionSet {
    conditions: Vec<Condition>,
}

/// Some condition before index `i` has the id of condition `i`.
fn repeats_id(cs: &Vec<Condition>, i: usize) -> (r: bool)
    requires
        i < cs@.len(),
    ensures
        r == exists|k: int| 0 <= k < i && #[trigger] cs@[k].id == cs@[i as int].id,
{
    let mut j: usize = 0;
    while j < i
        invariant
            i < cs@.len(),
            j <= i,
            forall|k: int| 0 <= k < j ==> cs@[k].id != cs@[i as int].id,
        decreases i - j,
    {
        if cs[j].id == cs[i].id {
            assert(cs@[j as int].id == cs@[i as int].id);
            return true;
        }
        j += 1;
    }
    false
}

/// Some condition before index `i` targets `region_id` with a signature
/// equal to `signature`.
fn repeats_signature(
    cs: &Vec<Condition>,
    i: usize,
    resolved: &Vec<ResolvedCondition>,
    signatures: &Vec<ConditionSignature>,
    region_id: RegionId,
    signature: &ConditionSignature,
    regions: Ghost<Seq<Region>>,
) -> (r: bool)
    requires
        i < cs@.len(),
        resolved@.len() == i,
        signatures@.len() == i,
        forall|k: int| 0 <= k < i ==> resolves_condition(#[trigger] resolved@[k], cs@[k], regions@),
        forall|k: int| 0 <= k < i ==> #[trigger] signatures@[k] == signature_of(cs@[k].kind),
    ensures
        r == exists|k: int|
            0 <= k < i && resolve(#[trigger] cs@[k].target, regions@) == Ok::<RegionId, AnnotationError>(
                region_id,
            ) && same_signature(signature_of(cs@[k].kind), *signature),
{
    let mut j: usize = 0;
    while j < i
        invariant
            i < cs@.len(),
            j <= i,
            resolved@.len() == i,
            signatures@.len() == i,
            forall|k: int| 0 <= k < i ==> resolves_condition(#[trigger] resolved@[k], cs@[k], regions@),
            forall|k: int| 0 <= k < i ==> #[trigger] signatures@[k] == signature_of(cs@[k].kind),
            forall|k: int|
                0 <= k < j ==> !(resolve(#[trigger] cs@[k].target, regions@) == Ok::<
                    RegionId,
                    AnnotationError,
                >(region_id) && same_signature(signature_of(cs@[k].kind), *signature)),
        decreases i - j,
    {
        assert(resolves_condition(resolved@[j as int], cs@[j as int], regions@));
        assert(signatures@[j as int] == signature_of(cs@[j as int].kind));
        proof {
            reveal(resolves_condition);
        }
        if resolved[j].region_id == region_id && same_signature_exec(&signatures[j], signature) {
            return true;
        }
        j += 1;
    }
    false
}

/// Checks condition `i` given the conditions before it: its region and
/// signature if it is fine, else its error.
#[verifier::rlimit(60)]
fn check_condition(
    cs: &Vec<Condition>,
    i: usize,
    resolved: &Vec<ResolvedCondition>,
    signatures: &Vec<ConditionSignature>,
    regions: &Vec<Region>,
    dimension: usize,
) -> (r: Result<(RegionId, ConditionSignature), ConditionError>)
    requires
        i < cs@.len(),
        resolved@.len() == i,
        signatures@.len() == i,
        forall|k: int| 0 <= k < i ==> resolves_condition(#[trigger] resolved@[k], cs@[k], regions@),
        forall|k: int| 0 <= k < i ==> #[trigger] signatures@[k] == signature_of(cs@[k].kind),
    ensures
        match r {
            Ok((region_id, signature)) => {
                &&& condition_error(cs@.take(i as int), cs@[i as int], dimension as nat, regions@) is None
                &&& Ok::<RegionId, AnnotationError>(region_id) == resolve(cs@[i as int].target, regions@)
                &&& signature == signature_of(cs@[i as int].kind)
            },
            Err(e) => condition_error(cs@.take(i as int), cs@[i as int], dimension as nat, regions@)
                matches Some(expected) && same_error(e, expected),
        },
{
    reveal(condition_error);
    let c = &cs[i];
    let ghost earlier = cs@.take(i as int);
    if repeats_id(cs, i) {
        let ghost k = choose|k: int| 0 <= k < i && #[trigger] cs@[k].id == cs@[i as int].id;
        assert(earlier[k].id == c.id);
        return Err(ConditionError::DuplicateConditionId { id: c.id });
    }
    assert(!exists|k: int| 0 <= k < earlier.len() && #[trigger] earlier[k].id == c.id) by {
        assert forall|k: int| 0 <= k < earlier.len() implies #[trigger] earlier[k].id != c.id by {
            assert(earlier[k] == cs@[k]);
        }
    }
    let region_id = match c.target.resolve_region_id(regions.as_slice()) {
        Ok(id) => id,
        Err(e) => {
            return Err(ConditionError::Selector(e));
        },
    };
    let region_dim = find_region_dimension(regions, region_id);
    let class = c.kind.target_class();
    if !dimension_fits_exec(class, dimension, region_dim) {
        return Err(
            ConditionError::InvalidTargetDimension {
                condition_id: c.id,
                kind: c.kind.copy(),
                expected: expected_description(class),
                actual: region_dim,
            },
        );
    }
    let signature = c.kind.signature();
    if repeats_signature(cs, i, resolved, signatures, region_id, &signature, Ghost(regions@)) {
        let ghost k = choose|k: int|
            0 <= k < i && resolve(#[trigger] cs@[k].target, regions@) == Ok::<RegionId, AnnotationError>(
                region_id,
            ) && same_signature(signature_of(cs@[k].kind), signature);
        assert(earlier[k] == cs@[k]);
        return Err(ConditionError::DuplicateConditionForTarget { region_id, signature });
    }
    assert(!exists|k: int|
        0 <= k < earlier.len() && resolve(#[trigger] earlier[k].target, regions@) == Ok::<
            RegionId,
            AnnotationError,
        >(region_id) && same_signature(signature_of(earlier[k].kind), signature_of(c.kind))) by {
        assert forall|k: int| 0 <= k < earlier.len() implies !(resolve(
            #[trigger] earlier[k].target,
            regions@,
        ) == Ok::<RegionId, AnnotationError>(region_id) && same_signature(
            signature_of(earlier[k].kind),
            signature_of(c.kind),
        )) by {
            assert(earlier[k] == cs@[k]);
        }
    }
    Ok((region_id, signature))
}

impl ConditionSet {
    /// A set without conditions.
    pub fn new() -> (s: ConditionSet)
        ensures
            s.spec_conditions() == Seq::<Condition>::empty(),
    {
        ConditionSet { conditions: Vec::new() }
    }

    /// The conditions, in the order they were added.
    pub closed spec fn spec_conditions(&self) -> Seq<Condition> {
        self.conditions@
    }

    /// This set and one more condition.
    pub fn with_condition(self, condition: Condition) -> (s: ConditionSet)
        ensures
            s.spec_conditions() == self.spec_conditions().push(condition),
    {
        let mut s = self;
        s.conditions.push(condition);
        s
    }

    /// The conditions.
    pub fn conditions(&self) -> (c: &Vec<Condition>)
        ensures
            c@ == self.spec_conditions(),
    {
        &self.conditions
    }

    /// Resolves every target against the regions of `topology`. Fails on the
    /// first condition (in order) that repeats an id, names no single region,
    /// targets a region of the wrong dimension for its kind, or repeats the
    /// signature of an earlier condition on the same region.
    pub fn validate_for_topology(&self, topology: &MeshTopology) -> (r: Result<
        ResolvedConditionSet,
        ConditionError,
    >)
        ensures
            match r {
                Ok(res) => {
                    &&& conditions_error(
                        self.spec_conditions(),
                        topology.spec_dimension(),
                        topology.spec_regions(),
                    ) is None
                    &&& res.conditions@.len() == self.spec_conditions().len()
                    &&& forall|i: int|
                        0 <= i < res.conditions@.len() ==> resolves_condition(
                            #[trigger] res.conditions@[i],
                            self.spec_conditions()[i],
                            topology.spec_regions(),
                        )
                },
                Err(e) => conditions_error(
                    self.spec_conditions(),
                    topology.spec_dimension(),
                    topology.spec_regions(),
                ) matches Some(expected) && same_error(e, expected),
            },
    {
        let regions = topology.regions();
        let dimension = topology.dimension();
        let ghost rs = regions@;
        let cs = &self.conditions;
        let mut resolved: Vec<ResolvedCondition> = Vec::new();
        let mut signatures: Vec<ConditionSignature> = Vec::new();
        let mut i: usize = 0;
        assert(cs@.take(0) =~= Seq::<Condition>::empty());
        while i < cs.len()
            invariant
                i <= cs@.len(),
                rs == regions@,
                rs == topology.spec_regions(),
                dimension == topology.spec_dimension(),
                cs@ == self.spec_conditions(),
                conditions_error(cs@.take(i as int), dimension as nat, rs) is None,
                resolved@.len() == i,
                signatures@.len() == i,
                forall|k: int|
                    0 <= k < i ==> resolves_condition(#[trigger] resolved@[k], cs@[k], rs),
                forall|k: int| 0 <= k < i ==> #[trigger] signatures@[k] == signature_of(cs@[k].kind),
            decreases cs@.len() - i,
        {
            assert(cs@.take(i + 1).drop_last() =~= cs@.take(i as int));
            assert(cs@.take(i + 1).last() == cs@[i as int]);
            match check_condition(cs, i, &resolved, &signatures, regions, dimension) {
                Err(e) => {
                    proof {
                        lemma_conditions_error_stays(cs@, dimension as nat, rs, i + 1);
                    }
                    return Err(e);
                },
                Ok((region_id, signature)) => {
                    let c = &cs[i];
                    let rc = ResolvedCondition {
                        id: c.id,
                        name: c.name.clone(),
                        region_id,
                        kind: c.kind.copy(),
                    };
                    assert(resolves_condition(rc, cs@[i as int], rs)) by {
                        reveal(resolves_condition);
                    }
                    resolved.push(rc);
                    signatures.push(signature);
                },
            }
            i += 1;
        }
        assert(cs@.take(cs@.len() as int) =~= cs@);
        Ok(ResolvedConditionSet { conditions: resolved })
    }
}

/// The conditions on `region`, in order.
pub open spec fn conditions_on(cs: Seq<ResolvedCondition>, region: RegionId) -> Seq<ResolvedCondition> {
    cs.filter(|c: ResolvedCondition| c.region_id == region)
}

/// The conditions behind references.
pub open spec fn referenced(v: Seq<&ResolvedCondition>) -> Seq<ResolvedCondition> {
    v.map_values(|c: &ResolvedCondition| *c)
}

proof fn lemma_conditions_on_step(cs: Seq<ResolvedCondition>, k: int, region: RegionId)
    requires
        0 <= k < cs.len(),
    ensures
        conditions_on(cs.take(k + 1), region) == (if cs[k].region_id == region {
            conditions_on(cs.take(k), region).push(cs[k])
        } else {
            conditions_on(cs.take(k), region)
        }),
{
    reveal(Seq::filter);
    assert(cs.take(k + 1).drop_last() =~= cs.take(k));
}

impl ResolvedConditionSet {
    /// The conditions grouped by the region they act on, each group in the
    /// order of the set.
    pub fn by_region(&self) -> (m: BTreeMap<RegionId, Vec<&ResolvedCondition>>)
        ensures
            forall|r: RegionId|
                #![trigger m@.contains_key(r)]
                m@.contains_key(r) <==> exists|i: int|
                    0 <= i < self.conditions@.len() && self.conditions@[i].region_id == r,
            forall|r: RegionId|
                #[trigger] m@.contains_key(r) ==> referenced(m@[r]@) == conditions_on(
                    self.conditions@,
                    r,
                ),
    {
        let ghost cs = self.conditions@;
        let mut m: BTreeMap<RegionId, Vec<&ResolvedCondition>> = BTreeMap::new();
        let mut k: usize = 0;
        while k < self.conditions.len()
            invariant
                k <= cs.len(),
                cs == self.conditions@,
                forall|r: RegionId|
                    #![trigger m@.contains_key(r)]
                    m@.contains_key(r) <==> exists|i: int| 0 <= i < k && cs[i].region_id == r,
                forall|r: RegionId|
                    #[trigger] m@.contains_key(r) ==> referenced(m@[r]@) == conditions_on(
                        cs.take(k as int),
                        r,
                    ),
            decreases cs.len() - k,
        {
            let c = &self.conditions[k];
            let r = c.region_id;
            let ghost before = m@;
            let group = match m.remove(&r) {
                Some(mut v) => {
                    v.push(c);
                    v
                },
                None => {
                    let mut v: Vec<&ResolvedCondition> = Vec::new();
                    v.push(c);
                    v
                },
            };
            let ghost group_view = group@;
            m.insert(r, group);
            proof {
                assert forall|q: RegionId| #[trigger] m@.contains_key(q) implies referenced(m@[q]@)
                    == conditions_on(cs.take(k + 1), q) by {
                    lemma_conditions_on_step(cs, k as int, q);
                    if q == r {
                        if before.contains_key(r) {
                            assert(referenced(group_view) =~= referenced(before[r]@).push(cs[k as int]));
                        } else {
                            assert(!exists|i: int| 0 <= i < k && cs[i].region_id == r);
                            assert(conditions_on(cs.take(k as int), r).len() == 0) by {
                                let pred = |c: ResolvedCondition| c.region_id == r;
                                assert forall|j: int| 0 <= j < cs.take(k as int).len() implies !pred(
                                    #[trigger] cs.take(k as int)[j],
                                ) by {
                                    assert(cs.take(k as int)[j] == cs[j]);
                                }
                                cs.take(k as int).lemma_all_neg_filter_empty(pred);
                            }
                            assert(referenced(group_view) =~= seq![cs[k as int]]);
                        }
                    }
                }
                assert forall|q: RegionId| #![trigger m@.contains_key(q)] m@.contains_key(q) <==> exists|i: int|
                    0 <= i < k + 1 && cs[i].region_id == q by {
                    if q == r {
                        assert(cs[k as int].region_id == q);
                    } else if exists|i: int| 0 <= i < k + 1 && cs[i].region_id == q {
                        let i = choose|i: int| 0 <= i < k + 1 && cs[i].region_id == q;
                        assert(i < k);
                    }
                }
            }
            k += 1;
        }
        assert(cs.take(cs.len() as int) =~= cs);
        m
    }
}

} // verus!
